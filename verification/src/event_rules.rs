//! Event-tree rules: node references (V-101), barrier branches (V-201,
//! V-202, V-203), operations (W-401, V-301) and consequences (V-302).

use vstd::prelude::*;
use crate::diagnostic::{
    error_view, warning_view, located, views, push_diag, extend_diags, error_at, warning_at,
    lemma_flat_map_step, lemma_flat_map_empty, lemma_take_all, Diagnostic, DiagnosticView,
    SpanKey, SpanKeyView,
};
use crate::ecel::Condition;
use crate::model::{
    Barrier, Branch, ConsequenceOperation, EventTree, Node, NodeEntry, node_entry_ids, index_of,
    lemma_index_of, node_position,
};
use crate::text::{is_alpha, is_alnum, decimal, decimal_string, owned, cat5, cat7, chars_of};

verus! {

/// The ids of the nodes of `tree`.
pub open spec fn node_ids(tree: EventTree) -> Seq<Seq<char>> {
    node_entry_ids(tree.nodes@)
}

/// A diagnostic located at node `id`.
pub open spec fn at_node(d: DiagnosticView, tree_name: Seq<char>, id: Seq<char>) -> Seq<
    DiagnosticView,
> {
    seq![located(d, SpanKeyView::Node { tree: tree_name, id })]
}

// ---------------------------------------------------------------------------
// Node references (V-101)
// ---------------------------------------------------------------------------

/// V-101 when `target`, referenced by node `id` at `key`, names no node.
pub open spec fn target_diag(
    tree_name: Seq<char>,
    tree: EventTree,
    id: Seq<char>,
    target: Seq<char>,
    key: SpanKeyView,
) -> Seq<DiagnosticView> {
    if node_ids(tree).contains(target) {
        Seq::empty()
    } else {
        seq![
            located(
                error_view(
                    "V-101"@,
                    "tree '"@ + tree_name + "': node '"@ + id + "' references '"@ + target
                        + "' which does not exist in this tree"@,
                ),
                key,
            ),
        ]
    }
}

/// V-101 for the `next` of the first `n` branches of barrier `id`.
pub open spec fn branch_target_diags(
    tree_name: Seq<char>,
    tree: EventTree,
    id: Seq<char>,
    bs: Seq<Branch>,
    n: int,
) -> Seq<DiagnosticView>
    decreases n,
{
    if n <= 0 {
        Seq::empty()
    } else {
        branch_target_diags(tree_name, tree, id, bs, n - 1) + target_diag(
            tree_name,
            tree,
            id,
            bs[n - 1].next@,
            SpanKeyView::BranchField {
                tree: tree_name,
                id,
                branch: (n - 1) as nat,
                field: "next"@,
            },
        )
    }
}

/// V-101 for the references node `e` makes.
pub open spec fn node_target_diags(tree_name: Seq<char>, tree: EventTree, e: NodeEntry) -> Seq<
    DiagnosticView,
> {
    let id = e.id@;
    match e.node {
        Node::Barrier(b) => branch_target_diags(
            tree_name,
            tree,
            id,
            b.branches@,
            b.branches@.len() as int,
        ),
        Node::Operation(op) => target_diag(
            tree_name,
            tree,
            id,
            op.next@,
            SpanKeyView::NodeField { tree: tree_name, id, field: "next"@ },
        ) + match op.on_failure {
            Some(f) => target_diag(
                tree_name,
                tree,
                id,
                f@,
                SpanKeyView::NodeField { tree: tree_name, id, field: "on_failure"@ },
            ),
            None => Seq::empty(),
        },
        Node::Consequence(_) => Seq::empty(),
    }
}

/// V-101 for the initiating event's `next`, then for every node reference.
pub open spec fn reference_diags(tree_name: Seq<char>, tree: EventTree) -> Seq<DiagnosticView> {
    let start = tree.initiating_event.next@;
    (if node_ids(tree).contains(start) {
        Seq::empty()
    } else {
        seq![
            located(
                error_view(
                    "V-101"@,
                    "tree '"@ + tree_name + "': initiatingEvent.next '"@ + start
                        + "' does not resolve to a node in this tree"@,
                ),
                SpanKeyView::InitiatingEvent { tree: tree_name, field: "next"@ },
            ),
        ]
    }) + tree.nodes@.flat_map(|e: NodeEntry| node_target_diags(tree_name, tree, e))
}

/// Whether `tree` has a node named `x`.
pub fn has_node_named(tree: &EventTree, x: &str) -> (b: bool)
    ensures
        b == node_ids(*tree).contains(x@),
{
    let k = node_position(&tree.nodes, x);
    proof {
        lemma_index_of(node_ids(*tree), x@);
    }
    k < tree.nodes.len()
}

fn target_check(tree_name: &str, tree: &EventTree, id: &str, target: &str, key: SpanKey) -> (r: Vec<
    Diagnostic,
>)
    ensures
        views(r@) == target_diag(tree_name@, *tree, id@, target@, key@),
{
    let mut out: Vec<Diagnostic> = Vec::new();
    if !has_node_named(tree, target) {
        let msg = cat7("tree '", tree_name, "': node '", id, "' references '", target,
            "' which does not exist in this tree");
        push_diag(&mut out, error_at("V-101", msg, key));
    }
    assert(views(out@) =~= target_diag(tree_name@, *tree, id@, target@, key@));
    out
}

fn node_target_check(tree_name: &str, tree: &EventTree, e: &NodeEntry) -> (r: Vec<Diagnostic>)
    ensures
        views(r@) == node_target_diags(tree_name@, *tree, *e),
{
    let id = e.id.as_str();
    let mut out: Vec<Diagnostic> = Vec::new();
    match &e.node {
        Node::Barrier(b) => {
            let mut i: usize = 0;
            while i < b.branches.len()
                invariant
                    i <= b.branches@.len(),
                    views(out@) == branch_target_diags(
                        tree_name@,
                        *tree,
                        id@,
                        b.branches@,
                        i as int,
                    ),
                decreases b.branches.len() - i,
            {
                let key = SpanKey::BranchField {
                    tree: owned(tree_name),
                    id: owned(id),
                    branch: i,
                    field: owned("next"),
                };
                let more = target_check(tree_name, tree, id, b.branches[i].next.as_str(), key);
                extend_diags(&mut out, more);
                i = i + 1;
            }
        },
        Node::Operation(op) => {
            let key = SpanKey::NodeField { tree: owned(tree_name), id: owned(id), field: owned("next") };
            let more = target_check(tree_name, tree, id, op.next.as_str(), key);
            extend_diags(&mut out, more);
            match &op.on_failure {
                Some(f) => {
                    let key = SpanKey::NodeField {
                        tree: owned(tree_name),
                        id: owned(id),
                        field: owned("on_failure"),
                    };
                    let more = target_check(tree_name, tree, id, f.as_str(), key);
                    extend_diags(&mut out, more);
                },
                None => {},
            }
            assert(views(out@) =~= node_target_diags(tree_name@, *tree, *e));
        },
        Node::Consequence(_) => {
            assert(views(out@) =~= node_target_diags(tree_name@, *tree, *e));
        },
    }
    out
}

/// Check that the initiating event and every node reference a node of the
/// tree (V-101).
pub fn check_node_references(tree_name: &str, tree: &EventTree, diagnostics: &mut Vec<Diagnostic>)
    ensures
        views(final(diagnostics)@) == views(old(diagnostics)@) + reference_diags(
            tree_name@,
            *tree,
        ),
{
    let ghost d0 = views(diagnostics@);
    let start = tree.initiating_event.next.as_str();
    if !has_node_named(tree, start) {
        let msg = cat5("tree '", tree_name, "': initiatingEvent.next '", start,
            "' does not resolve to a node in this tree");
        push_diag(
            diagnostics,
            error_at(
                "V-101",
                msg,
                SpanKey::InitiatingEvent { tree: owned(tree_name), field: owned("next") },
            ),
        );
    }
    let ghost d1 = views(diagnostics@);
    let ns = &tree.nodes;
    let ghost f = |e: NodeEntry| node_target_diags(tree_name@, *tree, e);
    proof {
        lemma_flat_map_empty(ns@, f);
    }
    let mut i: usize = 0;
    while i < ns.len()
        invariant
            i <= ns@.len(),
            ns@ == tree.nodes@,
            f == (|e: NodeEntry| node_target_diags(tree_name@, *tree, e)),
            views(diagnostics@) == d1 + ns@.take(i as int).flat_map(f),
        decreases ns.len() - i,
    {
        let more = node_target_check(tree_name, tree, &ns[i]);
        extend_diags(diagnostics, more);
        proof {
            lemma_flat_map_step(ns@, f, i as int);
        }
        i = i + 1;
    }
    proof {
        lemma_take_all(ns@);
    }
    assert(views(diagnostics@) =~= d0 + reference_diags(tree_name@, *tree));
}

// ---------------------------------------------------------------------------
// Barrier, operation and consequence rules
// ---------------------------------------------------------------------------

/// The number of default branches among the first `n` of `bs`.
pub open spec fn default_count(bs: Seq<Branch>, n: int) -> int
    decreases n,
{
    if n <= 0 {
        0
    } else {
        default_count(bs, n - 1) + if bs[n - 1].condition is Default {
            1int
        } else {
            0int
        }
    }
}

/// V-203 for the first `n` non-default branches that declare neither a
/// probability nor a probability source.
pub open spec fn unweighted_branch_diags(
    tree_name: Seq<char>,
    id: Seq<char>,
    bs: Seq<Branch>,
    n: int,
) -> Seq<DiagnosticView>
    decreases n,
{
    if n <= 0 {
        Seq::empty()
    } else {
        let b = bs[n - 1];
        unweighted_branch_diags(tree_name, id, bs, n - 1) + if b.condition is Default
            || b.has_probability || b.probability_source is Some {
            Seq::empty()
        } else {
            seq![
                located(
                    error_view(
                        "V-203"@,
                        "tree '"@ + tree_name + "': barrier '"@ + id + "' branch "@ + decimal(
                            (n - 1) as nat,
                        ) + " has no probability or probabilitySource"@,
                    ),
                    SpanKeyView::BranchField {
                        tree: tree_name,
                        id,
                        branch: (n - 1) as nat,
                        field: "probability"@,
                    },
                ),
            ]
        }
    }
}

/// The diagnostics the barrier rules give for barrier `id`: V-201 fewer
/// than two branches; V-202 more than one default branch, or a single one
/// that is not last; V-203 a weighted branch without a probability.
pub open spec fn barrier_diags(tree_name: Seq<char>, id: Seq<char>, b: Barrier) -> Seq<
    DiagnosticView,
> {
    let bs = b.branches@;
    let n = bs.len() as int;
    let defaults = default_count(bs, n);
    let last_is_default = n > 0 && bs[n - 1].condition is Default;
    (if n < 2 {
        at_node(
            error_view(
                "V-201"@,
                "tree '"@ + tree_name + "': barrier '"@ + id + "' has fewer than 2 branches"@,
            ),
            tree_name,
            id,
        )
    } else {
        Seq::empty()
    }) + (if defaults > 1 {
        at_node(
            error_view(
                "V-202"@,
                "tree '"@ + tree_name + "': barrier '"@ + id
                    + "' has more than one default branch"@,
            ),
            tree_name,
            id,
        )
    } else if defaults == 1 && !last_is_default {
        at_node(
            error_view(
                "V-202"@,
                "tree '"@ + tree_name + "': barrier '"@ + id
                    + "' default branch is not the last branch"@,
            ),
            tree_name,
            id,
        )
    } else {
        Seq::empty()
    }) + unweighted_branch_diags(tree_name, id, bs, n)
}

/// A Rust identifier: a letter or `_`, then letters, digits and `_`.
pub open spec fn rust_ident(s: Seq<char>) -> bool {
    &&& s.len() > 0
    &&& (is_alpha(s[0]) || s[0] == '_')
    &&& forall|i: int| 1 <= i < s.len() ==> is_alnum(#[trigger] s[i]) || s[i] == '_'
}

/// Whether `s` is a valid Rust identifier (ASCII letters, digits and `_`,
/// not starting with a digit).
pub fn is_rust_ident(s: &str) -> (b: bool)
    ensures
        b == rust_ident(s@),
{
    let v = chars_of(s);
    if v.len() == 0 {
        return false;
    }
    let c = v[0];
    if !(('a' <= c && c <= 'z') || ('A' <= c && c <= 'Z') || c == '_') {
        return false;
    }
    let mut i: usize = 1;
    while i < v.len()
        invariant
            1 <= i <= v.len(),
            v@ == s@,
            forall|j: int| 1 <= j < i ==> is_alnum(#[trigger] v@[j]) || v@[j] == '_',
        decreases v.len() - i,
    {
        let c = v[i];
        if !(('a' <= c && c <= 'z') || ('A' <= c && c <= 'Z') || ('0' <= c && c <= '9') || c
            == '_') {
            assert(!(is_alnum(v@[i as int]) || v@[i as int] == '_'));
            return false;
        }
        i = i + 1;
    }
    true
}

/// The diagnostics the node rules give for node `e`: the barrier rules,
/// W-401 an operation without `onFailure`, V-301 an operation handler that
/// is not an identifier, V-302 a `send` consequence without channel or
/// message.
pub open spec fn barrier_rule_diags(tree_name: Seq<char>, e: NodeEntry) -> Seq<DiagnosticView> {
    match e.node {
        Node::Barrier(b) => barrier_diags(tree_name, e.id@, b),
        _ => Seq::empty(),
    }
}

pub open spec fn operation_rule_diags(tree_name: Seq<char>, e: NodeEntry) -> Seq<DiagnosticView> {
    let id = e.id@;
    match e.node {
        Node::Operation(op) => (if op.on_failure is None {
            seq![
                located(
                    warning_view(
                        "W-401"@,
                        "tree '"@ + tree_name + "': operation '"@ + id
                            + "' has no onFailure path"@,
                    ),
                    SpanKeyView::Node { tree: tree_name, id },
                ),
            ]
        } else {
            Seq::empty()
        }) + (if rust_ident(op.handler@) {
            Seq::empty()
        } else {
            at_node(
                error_view(
                    "V-301"@,
                    "tree '"@ + tree_name + "': operation '"@ + id + "' handler '"@ + op.handler@
                        + "' is not a valid identifier (must start with a letter or underscore and contain only letters, digits, and underscores)"@,
                ),
                tree_name,
                id,
            )
        }),
        _ => Seq::empty(),
    }
}

pub open spec fn consequence_rule_diags(tree_name: Seq<char>, e: NodeEntry) -> Seq<DiagnosticView> {
    let id = e.id@;
    match e.node {
        Node::Consequence(c) => if c.operation == ConsequenceOperation::Send && (c.channel is None
            || c.message is None) {
            at_node(
                error_view(
                    "V-302"@,
                    "tree '"@ + tree_name + "': consequence '"@ + id
                        + "' has operation: send but omits channel or message"@,
                ),
                tree_name,
                id,
            )
        } else {
            Seq::empty()
        },
        _ => Seq::empty(),
    }
}

fn node_key(tree_name: &str, id: &str) -> (k: SpanKey)
    ensures
        k@ == (SpanKeyView::Node { tree: tree_name@, id: id@ }),
{
    SpanKey::Node { tree: owned(tree_name), id: owned(id) }
}

fn barrier_check(tree_name: &str, id: &str, b: &Barrier) -> (r: Vec<Diagnostic>)
    ensures
        views(r@) == barrier_diags(tree_name@, id@, *b),
{
    let bs = &b.branches;
    let n = bs.len();
    let mut out: Vec<Diagnostic> = Vec::new();
    if n < 2 {
        let msg = cat5("tree '", tree_name, "': barrier '", id, "' has fewer than 2 branches");
        push_diag(&mut out, error_at("V-201", msg, node_key(tree_name, id)));
    }
    let mut defaults: usize = 0;
    let mut last_is_default = false;
    let mut i: usize = 0;
    while i < n
        invariant
            n == bs@.len(),
            i <= n,
            defaults == default_count(bs@, i as int),
            defaults <= i,
            last_is_default == (i == n && n > 0 && bs@[n - 1].condition is Default),
        decreases n - i,
    {
        match bs[i].condition {
            Condition::Default => {
                defaults = defaults + 1;
                if i == n - 1 {
                    last_is_default = true;
                }
            },
            _ => {},
        }
        i = i + 1;
    }
    if defaults > 1 {
        let msg = cat5("tree '", tree_name, "': barrier '", id, "' has more than one default branch");
        push_diag(&mut out, error_at("V-202", msg, node_key(tree_name, id)));
    } else if defaults == 1 && !last_is_default {
        let msg = cat5("tree '", tree_name, "': barrier '", id,
            "' default branch is not the last branch");
        push_diag(&mut out, error_at("V-202", msg, node_key(tree_name, id)));
    }
    let ghost head = views(out@);
    let mut j: usize = 0;
    while j < n
        invariant
            n == bs@.len(),
            j <= n,
            views(out@) == head + unweighted_branch_diags(tree_name@, id@, bs@, j as int),
        decreases n - j,
    {
        let br = &bs[j];
        let is_default = match br.condition {
            Condition::Default => true,
            _ => false,
        };
        if !is_default && !br.has_probability && br.probability_source.is_none() {
            let msg = cat5("tree '", tree_name, "': barrier '", id, "' branch ").concat(
                decimal_string(j as u64).as_str(),
            ).concat(" has no probability or probabilitySource");
            let key = SpanKey::BranchField {
                tree: owned(tree_name),
                id: owned(id),
                branch: j,
                field: owned("probability"),
            };
            push_diag(&mut out, error_at("V-203", msg, key));
        }
        j = j + 1;
    }
    assert(views(out@) =~= barrier_diags(tree_name@, id@, *b));
    out
}

fn node_rule_check(tree_name: &str, e: &NodeEntry, which: u8) -> (r: Vec<Diagnostic>)
    ensures
        views(r@) == (if which == 0 {
            barrier_rule_diags(tree_name@, *e)
        } else if which == 1 {
            operation_rule_diags(tree_name@, *e)
        } else {
            consequence_rule_diags(tree_name@, *e)
        }),
{
    let id = e.id.as_str();
    let mut out: Vec<Diagnostic> = Vec::new();
    match &e.node {
        Node::Barrier(b) => {
            if which == 0 {
                out = barrier_check(tree_name, id, b);
            }
            assert(views(out@) =~= (if which == 0 {
                barrier_rule_diags(tree_name@, *e)
            } else if which == 1 {
                operation_rule_diags(tree_name@, *e)
            } else {
                consequence_rule_diags(tree_name@, *e)
            }));
        },
        Node::Operation(op) => {
            if which == 1 {
                if op.on_failure.is_none() {
                    let msg = cat5("tree '", tree_name, "': operation '", id,
                        "' has no onFailure path");
                    push_diag(&mut out, warning_at("W-401", msg, node_key(tree_name, id)));
                }
                if !is_rust_ident(op.handler.as_str()) {
                    let msg = cat7("tree '", tree_name, "': operation '", id, "' handler '",
                        op.handler.as_str(),
                        "' is not a valid identifier (must start with a letter or underscore and contain only letters, digits, and underscores)");
                    push_diag(&mut out, error_at("V-301", msg, node_key(tree_name, id)));
                }
            }
            assert(views(out@) =~= (if which == 0 {
                barrier_rule_diags(tree_name@, *e)
            } else if which == 1 {
                operation_rule_diags(tree_name@, *e)
            } else {
                consequence_rule_diags(tree_name@, *e)
            }));
        },
        Node::Consequence(c) => {
            if which >= 2 {
                let send = match c.operation {
                    ConsequenceOperation::Send => true,
                    ConsequenceOperation::Terminate => false,
                };
                assert(send == (c.operation == ConsequenceOperation::Send));
                if send && (c.channel.is_none() || c.message.is_none()) {
                    let msg = cat5("tree '", tree_name, "': consequence '", id,
                        "' has operation: send but omits channel or message");
                    push_diag(&mut out, error_at("V-302", msg, node_key(tree_name, id)));
                }
            }
            assert(views(out@) =~= (if which == 0 {
                barrier_rule_diags(tree_name@, *e)
            } else if which == 1 {
                operation_rule_diags(tree_name@, *e)
            } else {
                consequence_rule_diags(tree_name@, *e)
            }));
        },
    }
    assert(views(out@) =~= (if which == 0 {
        barrier_rule_diags(tree_name@, *e)
    } else if which == 1 {
        operation_rule_diags(tree_name@, *e)
    } else {
        consequence_rule_diags(tree_name@, *e)
    }));
    out
}

/// The diagnostics of one family of node rules (0 barrier, 1 operation,
/// 2 consequence) over every node, in node order.
pub open spec fn node_rules(tree_name: Seq<char>, tree: EventTree, which: u8) -> Seq<
    DiagnosticView,
> {
    tree.nodes@.flat_map(
        |e: NodeEntry|
            if which == 0 {
                barrier_rule_diags(tree_name, e)
            } else if which == 1 {
                operation_rule_diags(tree_name, e)
            } else {
                consequence_rule_diags(tree_name, e)
            },
    )
}

/// Apply one family of node rules (0 barrier, 1 operation, 2 consequence)
/// to every node.
pub fn check_node_rules(
    tree_name: &str,
    tree: &EventTree,
    which: u8,
    diagnostics: &mut Vec<Diagnostic>,
)
    ensures
        views(final(diagnostics)@) == views(old(diagnostics)@) + node_rules(
            tree_name@,
            *tree,
            which,
        ),
{
    let ns = &tree.nodes;
    let ghost f = |e: NodeEntry|
        if which == 0 {
            barrier_rule_diags(tree_name@, e)
        } else if which == 1 {
            operation_rule_diags(tree_name@, e)
        } else {
            consequence_rule_diags(tree_name@, e)
        };
    proof {
        lemma_flat_map_empty(ns@, f);
    }
    let mut i: usize = 0;
    while i < ns.len()
        invariant
            i <= ns@.len(),
            ns@ == tree.nodes@,
            f == (|e: NodeEntry|
                if which == 0 {
                    barrier_rule_diags(tree_name@, e)
                } else if which == 1 {
                    operation_rule_diags(tree_name@, e)
                } else {
                    consequence_rule_diags(tree_name@, e)
                }),
            views(diagnostics@) == views(old(diagnostics)@) + ns@.take(i as int).flat_map(f),
        decreases ns.len() - i,
    {
        let more = node_rule_check(tree_name, &ns[i], which);
        extend_diags(diagnostics, more);
        proof {
            lemma_flat_map_step(ns@, f, i as int);
        }
        i = i + 1;
    }
    proof {
        lemma_take_all(ns@);
    }
}

} // verus!
