//! Fault-tree rules: gate arity and parameters (V-501, V-502, V-505) and
//! basic-event probability sources and numeric validity (V-503, V-504,
//! V-507).

use vstd::prelude::*;
use crate::diagnostic::{
    error_view, located, views, push_diag, extend_diags, error_at, lemma_flat_map_step,
    lemma_flat_map_empty, lemma_take_all, Diagnostic, DiagnosticView, SpanKey, SpanKeyView,
};
use crate::model::{BasicEvent, BasicEventEntry, FaultTree, Gate, GateEntry, GateType, Measure};
use crate::text::{decimal, decimal_string, owned, cat, cat3, cat5, cat7};

verus! {

/// An error located at gate `id` of fault tree `ft`.
pub open spec fn at_gate(code: Seq<char>, ft: Seq<char>, id: Seq<char>, msg: Seq<char>) -> Seq<
    DiagnosticView,
> {
    seq![located(error_view(code, msg), SpanKeyView::Gate { tree: ft, id })]
}

/// An error located at field `field` of gate `id`.
pub open spec fn at_gate_field(
    code: Seq<char>,
    ft: Seq<char>,
    id: Seq<char>,
    field: Seq<char>,
    msg: Seq<char>,
) -> Seq<DiagnosticView> {
    seq![located(error_view(code, msg), SpanKeyView::GateField { tree: ft, id, field })]
}

/// V-501 for a gate of `n` inputs: `kind` names its type,
/// `requirement` the arity rule it breaks.
pub open spec fn arity_error(
    ft: Seq<char>,
    id: Seq<char>,
    kind: Seq<char>,
    n: nat,
    requirement: Seq<char>,
) -> Seq<DiagnosticView> {
    at_gate(
        "V-501"@,
        ft,
        id,
        "fault tree '"@ + ft + "': "@ + kind + " gate '"@ + id + "' has "@ + decimal(n) + " input(s), "@
            + requirement,
    )
}

/// The diagnostics the arity and parameter rules give for gate `id`.
pub open spec fn gate_rule_diags(ft: Seq<char>, id: Seq<char>, g: Gate) -> Seq<DiagnosticView> {
    let n = g.inputs@.len();
    match g.gate_type {
        GateType::And => if n < 2 {
            arity_error(ft, id, "And"@, n, "minimum 2 required"@)
        } else {
            Seq::empty()
        },
        GateType::Or => if n < 2 {
            arity_error(ft, id, "Or"@, n, "minimum 2 required"@)
        } else {
            Seq::empty()
        },
        GateType::Not => if n != 1 {
            arity_error(ft, id, "NOT"@, n, "exactly 1 required"@)
        } else {
            Seq::empty()
        },
        GateType::Xor => if n != 2 {
            arity_error(ft, id, "XOR"@, n, "exactly 2 required"@)
        } else {
            Seq::empty()
        },
        GateType::Voting => (if n < 2 {
            arity_error(ft, id, "VOTING"@, n, "minimum 2 required"@)
        } else {
            Seq::empty()
        }) + match g.k {
            Some(k) => if k < 1 || k > n {
                at_gate_field(
                    "V-502"@,
                    ft,
                    id,
                    "k"@,
                    "fault tree '"@ + ft + "': VOTING gate '"@ + id + "' k="@ + decimal(k as nat)
                        + " must satisfy 1 <= k <= n="@ + decimal(n),
                )
            } else {
                Seq::empty()
            },
            None => at_gate_field(
                "V-502"@,
                ft,
                id,
                "k"@,
                "fault tree '"@ + ft + "': VOTING gate '"@ + id + "' missing required 'k' field"@,
            ),
        },
        GateType::Inhibit => (if n != 2 {
            arity_error(ft, id, "INHIBIT"@, n, "exactly 2 required"@)
        } else {
            Seq::empty()
        }) + (if !g.has_inhibit_condition {
            at_gate_field(
                "V-505"@,
                ft,
                id,
                "inhibit_condition"@,
                "fault tree '"@ + ft + "': INHIBIT gate '"@ + id
                    + "' missing required 'inhibitCondition' field"@,
            )
        } else {
            Seq::empty()
        }),
        GateType::PriorityAnd => if n < 2 {
            arity_error(ft, id, "PRIORITY_AND"@, n, "minimum 2 required"@)
        } else {
            Seq::empty()
        },
    }
}

/// The gates of a fault tree (none when it declares no `gates`).
pub open spec fn gates_of(ft: FaultTree) -> Seq<GateEntry> {
    match ft.gates {
        Some(gs) => gs@,
        None => Seq::empty(),
    }
}

/// The diagnostics of the arity and parameter rules over every gate, in order.
pub open spec fn gate_rules(ft_name: Seq<char>, ft: FaultTree) -> Seq<DiagnosticView> {
    gates_of(ft).flat_map(|e: GateEntry| gate_rule_diags(ft_name, e.id@, e.gate))
}

fn gate_key(ft: &str, id: &str) -> (k: SpanKey)
    ensures
        k@ == (SpanKeyView::Gate { tree: ft@, id: id@ }),
{
    SpanKey::Gate { tree: owned(ft), id: owned(id) }
}

fn gate_field_key(ft: &str, id: &str, field: &str) -> (k: SpanKey)
    ensures
        k@ == (SpanKeyView::GateField { tree: ft@, id: id@, field: field@ }),
{
    SpanKey::GateField { tree: owned(ft), id: owned(id), field: owned(field) }
}

fn arity_diag(ft: &str, id: &str, kind: &str, n: usize, requirement: &str) -> (d: Diagnostic)
    ensures
        seq![d@] == arity_error(ft@, id@, kind@, n as nat, requirement@),
{
    let count = decimal_string(n as u64);
    let msg = cat7("fault tree '", ft, "': ", kind, " gate '", id, "' has ").concat(
        count.as_str(),
    ).concat(" input(s), ").concat(requirement);
    let d = error_at("V-501", msg, gate_key(ft, id));
    assert(seq![d@] =~= arity_error(ft@, id@, kind@, n as nat, requirement@));
    d
}

fn gate_rule_check(ft: &str, id: &str, g: &Gate) -> (r: Vec<Diagnostic>)
    ensures
        views(r@) == gate_rule_diags(ft@, id@, *g),
{
    let n = g.inputs.len();
    let mut out: Vec<Diagnostic> = Vec::new();
    match g.gate_type {
        GateType::And => {
            if n < 2 {
                push_diag(&mut out, arity_diag(ft, id, "And", n, "minimum 2 required"));
            }
        },
        GateType::Or => {
            if n < 2 {
                push_diag(&mut out, arity_diag(ft, id, "Or", n, "minimum 2 required"));
            }
        },
        GateType::Not => {
            if n != 1 {
                push_diag(&mut out, arity_diag(ft, id, "NOT", n, "exactly 1 required"));
            }
        },
        GateType::Xor => {
            if n != 2 {
                push_diag(&mut out, arity_diag(ft, id, "XOR", n, "exactly 2 required"));
            }
        },
        GateType::Voting => {
            if n < 2 {
                push_diag(&mut out, arity_diag(ft, id, "VOTING", n, "minimum 2 required"));
            }
            let ghost first = views(out@);
            match g.k {
                Some(k) => {
                    if k < 1 || k as usize > n {
                        let msg = cat5("fault tree '", ft, "': VOTING gate '", id, "' k=").concat(
                            decimal_string(k as u64).as_str(),
                        ).concat(" must satisfy 1 <= k <= n=").concat(
                            decimal_string(n as u64).as_str(),
                        );
                        push_diag(&mut out, error_at("V-502", msg, gate_field_key(ft, id, "k")));
                    }
                },
                None => {
                    let msg = cat5(
                        "fault tree '",
                        ft,
                        "': VOTING gate '",
                        id,
                        "' missing required 'k' field",
                    );
                    push_diag(&mut out, error_at("V-502", msg, gate_field_key(ft, id, "k")));
                },
            }
        },
        GateType::Inhibit => {
            if n != 2 {
                push_diag(&mut out, arity_diag(ft, id, "INHIBIT", n, "exactly 2 required"));
            }
            if !g.has_inhibit_condition {
                let msg = cat5(
                    "fault tree '",
                    ft,
                    "': INHIBIT gate '",
                    id,
                    "' missing required 'inhibitCondition' field",
                );
                push_diag(
                    &mut out,
                    error_at("V-505", msg, gate_field_key(ft, id, "inhibit_condition")),
                );
            }
        },
        GateType::PriorityAnd => {
            if n < 2 {
                push_diag(&mut out, arity_diag(ft, id, "PRIORITY_AND", n, "minimum 2 required"));
            }
        },
    }
    assert(views(out@) =~= gate_rule_diags(ft@, id@, *g));
    out
}

/// Check the arity and parameter rules of every gate: V-501 wrong number of
/// inputs for its type, V-502 missing or out-of-range `k` of a VOTING
/// gate, V-505 INHIBIT gate without `inhibitCondition`.
pub fn check_gate_rules(ft_name: &str, ft: &FaultTree, diagnostics: &mut Vec<Diagnostic>)
    ensures
        views(final(diagnostics)@) == views(old(diagnostics)@) + gate_rules(ft_name@, *ft),
{
    let gates = match &ft.gates {
        Some(g) => g,
        None => {
            assert(gate_rules(ft_name@, *ft) =~= Seq::<DiagnosticView>::empty());
            assert(views(diagnostics@) =~= views(old(diagnostics)@) + gate_rules(ft_name@, *ft));
            return ;
        },
    };
    let ghost f = |e: GateEntry| gate_rule_diags(ft_name@, e.id@, e.gate);
    proof {
        lemma_flat_map_empty(gates@, f);
    }
    let mut i: usize = 0;
    while i < gates.len()
        invariant
            i <= gates@.len(),
            gates@ == gates_of(*ft),
            f == (|e: GateEntry| gate_rule_diags(ft_name@, e.id@, e.gate)),
            views(diagnostics@) == views(old(diagnostics)@) + gates@.take(i as int).flat_map(f),
        decreases gates.len() - i,
    {
        let e = &gates[i];
        let more = gate_rule_check(ft_name, e.id.as_str(), &e.gate);
        extend_diags(diagnostics, more);
        proof {
            lemma_flat_map_step(gates@, f, i as int);
        }
        i = i + 1;
    }
    proof {
        lemma_take_all(gates@);
    }
}

// ---------------------------------------------------------------------------
// Basic events
// ---------------------------------------------------------------------------

/// A V-507 error about basic event `id`.
pub open spec fn numeric_error(ft: Seq<char>, id: Seq<char>, detail: Seq<char>) -> Seq<
    DiagnosticView,
> {
    seq![
        located(
            error_view("V-507"@, "fault tree '"@ + ft + "': basic event '"@ + id + "': "@ + detail),
            SpanKeyView::BasicEvent { tree: ft, id },
        ),
    ]
}

/// An error located at basic event `id`.
pub open spec fn at_basic_event(code: Seq<char>, ft: Seq<char>, id: Seq<char>, msg: Seq<char>) -> Seq<
    DiagnosticView,
> {
    seq![located(error_view(code, msg), SpanKeyView::BasicEvent { tree: ft, id })]
}

/// V-507 for a probability: it must be finite and within `[0, 1]`.
pub open spec fn probability_diags(ft: Seq<char>, id: Seq<char>, p: Option<Measure>) -> Seq<
    DiagnosticView,
> {
    match p {
        Some(m) => if !m.finite {
            numeric_error(ft, id, "probability "@ + m.text@ + " is not finite (NaN or infinity)"@)
        } else if m.negative || m.above_one {
            numeric_error(
                ft,
                id,
                "probability "@ + m.text@ + " is outside the valid range [0, 1]"@,
            )
        } else {
            Seq::empty()
        },
        None => Seq::empty(),
    }
}

/// V-507 for a non-negative quantity: `name` labels it, `rule` says why a
/// negative value is wrong.
pub open spec fn nonnegative_diags(
    ft: Seq<char>,
    id: Seq<char>,
    name: Seq<char>,
    rule: Seq<char>,
    x: Option<Measure>,
) -> Seq<DiagnosticView> {
    match x {
        Some(m) => if !m.finite {
            numeric_error(ft, id, name + " "@ + m.text@ + " is not finite (NaN or infinity)"@)
        } else if m.negative {
            numeric_error(ft, id, name + " "@ + m.text@ + " is negative; "@ + rule)
        } else {
            Seq::empty()
        },
        None => Seq::empty(),
    }
}

/// The diagnostics the basic-event rules give for basic event `id`.
pub open spec fn basic_event_diags(ft: Seq<char>, id: Seq<char>, be: BasicEvent) -> Seq<
    DiagnosticView,
> {
    let has_prob = be.probability is Some;
    let has_rate = be.failure_rate is Some;
    let has_time = be.mission_time is Some;
    (if has_prob && has_rate {
        at_basic_event(
            "V-503"@,
            ft,
            id,
            "fault tree '"@ + ft + "': basic event '"@ + id
                + "' supplies both probability and failureRate"@,
        )
    } else if !has_prob && !has_rate && !be.declares_reliability_source {
        at_basic_event(
            "V-503"@,
            ft,
            id,
            "fault tree '"@ + ft + "': basic event '"@ + id
                + "' supplies neither probability nor failureRate"@,
        )
    } else {
        Seq::empty()
    }) + (if has_rate && !has_time {
        at_basic_event(
            "V-504"@,
            ft,
            id,
            "fault tree '"@ + ft + "': basic event '"@ + id + "' has failureRate but no missionTime"@,
        )
    } else {
        Seq::empty()
    }) + probability_diags(ft, id, be.probability) + nonnegative_diags(
        ft,
        id,
        "failureRate"@,
        "a rate must be >= 0"@,
        be.failure_rate,
    ) + nonnegative_diags(ft, id, "missionTime"@, "a duration must be >= 0"@, be.mission_time)
}

/// The diagnostics of the basic-event rules over every basic event.
pub open spec fn basic_event_rules(ft_name: Seq<char>, ft: FaultTree) -> Seq<DiagnosticView> {
    ft.basic_events@.flat_map(|e: BasicEventEntry| basic_event_diags(ft_name, e.id@, e.event))
}

fn basic_event_key(ft: &str, id: &str) -> (k: SpanKey)
    ensures
        k@ == (SpanKeyView::BasicEvent { tree: ft@, id: id@ }),
{
    SpanKey::BasicEvent { tree: owned(ft), id: owned(id) }
}

fn basic_event_numeric_error(ft: &str, id: &str, detail: String) -> (d: Diagnostic)
    ensures
        seq![d@] == numeric_error(ft@, id@, detail@),
{
    let msg = cat5("fault tree '", ft, "': basic event '", id, "': ").concat(detail.as_str());
    let d = error_at("V-507", msg, basic_event_key(ft, id));
    assert(seq![d@] =~= numeric_error(ft@, id@, detail@));
    d
}

fn check_nonnegative(
    ft: &str,
    id: &str,
    name: &str,
    rule: &str,
    x: &Option<Measure>,
    out: &mut Vec<Diagnostic>,
)
    ensures
        views(final(out)@) == views(old(out)@) + nonnegative_diags(ft@, id@, name@, rule@, *x),
{
    match x {
        Some(m) => {
            if !m.finite {
                let d = basic_event_numeric_error(
                    ft,
                    id,
                    cat3(name, " ", m.text.as_str()).concat(" is not finite (NaN or infinity)"),
                );
                push_diag(out, d);
            } else if m.negative {
                let d = basic_event_numeric_error(
                    ft,
                    id,
                    cat5(name, " ", m.text.as_str(), " is negative; ", rule),
                );
                push_diag(out, d);
            }
        },
        None => {},
    }
    assert(views(out@) =~= views(old(out)@) + nonnegative_diags(ft@, id@, name@, rule@, *x));
}

fn basic_event_check(ft: &str, id: &str, be: &BasicEvent) -> (r: Vec<Diagnostic>)
    ensures
        views(r@) == basic_event_diags(ft@, id@, *be),
{
    let mut out: Vec<Diagnostic> = Vec::new();
    let has_prob = be.probability.is_some();
    let has_rate = be.failure_rate.is_some();
    let has_time = be.mission_time.is_some();
    if has_prob && has_rate {
        let msg = cat5(
            "fault tree '",
            ft,
            "': basic event '",
            id,
            "' supplies both probability and failureRate",
        );
        push_diag(&mut out, error_at("V-503", msg, basic_event_key(ft, id)));
    } else if !has_prob && !has_rate && !be.declares_reliability_source {
        let msg = cat5(
            "fault tree '",
            ft,
            "': basic event '",
            id,
            "' supplies neither probability nor failureRate",
        );
        push_diag(&mut out, error_at("V-503", msg, basic_event_key(ft, id)));
    }
    if has_rate && !has_time {
        let msg = cat5(
            "fault tree '",
            ft,
            "': basic event '",
            id,
            "' has failureRate but no missionTime",
        );
        push_diag(&mut out, error_at("V-504", msg, basic_event_key(ft, id)));
    }
    let ghost head = views(out@);
    match &be.probability {
        Some(m) => {
            if !m.finite {
                let d = basic_event_numeric_error(
                    ft,
                    id,
                    cat3("probability ", m.text.as_str(), " is not finite (NaN or infinity)"),
                );
                push_diag(&mut out, d);
            } else if m.negative || m.above_one {
                let d = basic_event_numeric_error(
                    ft,
                    id,
                    cat3("probability ", m.text.as_str(), " is outside the valid range [0, 1]"),
                );
                push_diag(&mut out, d);
            }
        },
        None => {},
    }
    assert(views(out@) =~= head + probability_diags(ft@, id@, be.probability));
    check_nonnegative(ft, id, "failureRate", "a rate must be >= 0", &be.failure_rate, &mut out);
    check_nonnegative(
        ft,
        id,
        "missionTime",
        "a duration must be >= 0",
        &be.mission_time,
        &mut out,
    );
    assert(views(out@) =~= basic_event_diags(ft@, id@, *be));
    out
}

/// Check every basic event: V-503 both or neither of probability and
/// failureRate (an `x-reliability.source` stands in for both), V-504
/// failureRate without missionTime, V-507 a non-finite or out-of-range
/// number.
pub fn check_basic_event_rules(ft_name: &str, ft: &FaultTree, diagnostics: &mut Vec<Diagnostic>)
    ensures
        views(final(diagnostics)@) == views(old(diagnostics)@) + basic_event_rules(
            ft_name@,
            *ft,
        ),
{
    let bes = &ft.basic_events;
    let ghost f = |e: BasicEventEntry| basic_event_diags(ft_name@, e.id@, e.event);
    proof {
        lemma_flat_map_empty(bes@, f);
    }
    let mut i: usize = 0;
    while i < bes.len()
        invariant
            i <= bes@.len(),
            bes@ == ft.basic_events@,
            f == (|e: BasicEventEntry| basic_event_diags(ft_name@, e.id@, e.event)),
            views(diagnostics@) == views(old(diagnostics)@) + bes@.take(i as int).flat_map(f),
        decreases bes.len() - i,
    {
        let e = &bes[i];
        let more = basic_event_check(ft_name, e.id.as_str(), &e.event);
        extend_diags(diagnostics, more);
        proof {
            lemma_flat_map_step(bes@, f, i as int);
        }
        i = i + 1;
    }
    proof {
        lemma_take_all(bes@);
    }
}

} // verus!
